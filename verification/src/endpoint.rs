use vstd::prelude::*;

use core::marker::PhantomData;

use crate::error::NttError;
use crate::manager::{lemma_manager_encoding_injective, manager_encoding, manager_wf, ManagerMessage};
use crate::payload::Payload;

verus! {

/// A transport capability: a statically known attestation network,
/// identified on the wire by a fixed 4-byte prefix used for framing and
/// domain separation. New transports are added by defining a new prefix
/// constant, never by runtime dispatch.
pub trait Endpoint {
    /// The transport's fixed wire prefix.
    spec fn spec_prefix() -> Seq<u8>;

    /// Every transport prefix is exactly 4 bytes.
    proof fn prefix_is_4_bytes()
        ensures
            Self::spec_prefix().len() == 4,
    ;

    /// The prefix, as executable code emits and checks it.
    fn prefix() -> (p: [u8; 4])
        ensures
            p@ == Self::spec_prefix(),
    ;
}

/// The transport endpoint of the supported attestation network.
#[derive(PartialEq, Eq, Clone, Debug)]
pub struct WormholeEndpoint {}

impl Endpoint for WormholeEndpoint {
    open spec fn spec_prefix() -> Seq<u8> {
        seq![0x99u8, 0x45u8, 0xFFu8, 0x10u8]
    }

    proof fn prefix_is_4_bytes() {
    }

    fn prefix() -> (p: [u8; 4]) {
        let p: [u8; 4] = [0x99u8, 0x45u8, 0xFFu8, 0x10u8];
        proof {
            assert(p@ =~= Self::spec_prefix());
        }
        p
    }
}

/// The wire envelope that crosses the attestation boundary: transport `E`'s
/// 4-byte prefix followed by the encoding of a manager message. It exists
/// for framing only and has no identity beyond its encoded bytes.
#[derive(Debug)]
pub struct EndpointMessage<E, A> {
    pub message_data: ManagerMessage<A>,
    pub endpoint: PhantomData<E>,
}

/// The wire encoding of an endpoint message under transport `E`.
pub open spec fn endpoint_encoding<E: Endpoint, A: Payload>(m: ManagerMessage<A>) -> Seq<u8> {
    E::spec_prefix() + manager_encoding(m)
}

impl<E: Endpoint, A: Payload> EndpointMessage<E, A> {
    /// Wraps a manager message for transport under `E`.
    pub fn new(message_data: ManagerMessage<A>) -> (r: EndpointMessage<E, A>)
        ensures
            r.message_data == message_data,
    {
        EndpointMessage { message_data, endpoint: PhantomData }
    }

    /// Serializes this envelope: the 4-byte transport prefix, then the
    /// manager message. Fails with `PayloadTooLarge` exactly when the
    /// payload body exceeds 65535 bytes.
    pub fn encode(&self) -> (r: Result<Vec<u8>, NttError>)
        requires
            self.message_data.payload.wf(),
        ensures
            (match r {
                Ok(v) => self.message_data.payload.encoding().len() <= 0xFFFF && v@
                    == endpoint_encoding::<E, A>(self.message_data),
                Err(e) => e == NttError::PayloadTooLarge
                    && self.message_data.payload.encoding().len() > 0xFFFF,
            }),
    {
        proof {
            E::prefix_is_4_bytes();
        }
        let size: usize = self.message_data.payload.written_size();
        if size > 0xFFFF {
            return Err(NttError::PayloadTooLarge);
        }
        let prefix: [u8; 4] = E::prefix();
        let mut out: Vec<u8> = Vec::new();
        out.push(prefix[0]);
        out.push(prefix[1]);
        out.push(prefix[2]);
        out.push(prefix[3]);
        proof {
            assert(out@ =~= E::spec_prefix());
        }
        self.message_data.write(&mut out);
        proof {
            assert(out@ =~= endpoint_encoding::<E, A>(self.message_data));
        }
        Ok(out)
    }

    /// Deserializes an endpoint message from the front of `input`. The
    /// 4-byte prefix is read and compared first: on mismatch decoding
    /// aborts with `UnrecognizedTransport` — exactly when the input holds
    /// at least 4 bytes that are not `E`'s prefix — and the inner bytes are
    /// never interpreted. Decoding an exact encoding consumes it whole and
    /// gives back a message with the same sequence, sender, and payload
    /// body.
    pub fn decode(input: &Vec<u8>) -> (r: Result<(EndpointMessage<E, A>, usize), NttError>)
        ensures
            (match r {
                Ok(p) => manager_wf(p.0.message_data) && 4 <= p.1 <= input@.len()
                    && input@.subrange(0, 4) == E::spec_prefix() && manager_encoding(
                    p.0.message_data,
                ) == input@.subrange(4, p.1 as int),
                Err(e) => e == NttError::UnrecognizedTransport || e
                    == NttError::MalformedEncoding,
            }),
            (r matches Err(e) && e == NttError::UnrecognizedTransport) <==> (input@.len() >= 4
                && input@.subrange(0, 4) != E::spec_prefix()),
            forall|m: ManagerMessage<A>|
                #[trigger] endpoint_encoding::<E, A>(m) == input@ && manager_wf(m) ==> (r matches
                Ok(q) && q.1 == input@.len() && q.0.message_data.sequence == m.sequence
                    && q.0.message_data.sender@ == m.sender@
                    && q.0.message_data.payload.encoding() == m.payload.encoding()),
    {
        proof {
            E::prefix_is_4_bytes();
        }
        let n: usize = input.len();
        if n < 4 {
            proof {
                assert forall|m: ManagerMessage<A>|
                    !(#[trigger] endpoint_encoding::<E, A>(m) == input@ && manager_wf(m)) by {
                    assert(endpoint_encoding::<E, A>(m).len() >= 4);
                };
            }
            return Err(NttError::MalformedEncoding);
        }
        let prefix: [u8; 4] = E::prefix();
        if input[0] != prefix[0] || input[1] != prefix[1] || input[2] != prefix[2] || input[3]
            != prefix[3] {
            proof {
                assert(input@.subrange(0, 4) != E::spec_prefix()) by {
                    if input@.subrange(0, 4) == E::spec_prefix() {
                        assert(input@.subrange(0, 4)[0] == input@[0]);
                        assert(input@.subrange(0, 4)[1] == input@[1]);
                        assert(input@.subrange(0, 4)[2] == input@[2]);
                        assert(input@.subrange(0, 4)[3] == input@[3]);
                    }
                };
                assert forall|m: ManagerMessage<A>|
                    !(#[trigger] endpoint_encoding::<E, A>(m) == input@ && manager_wf(m)) by {
                    if endpoint_encoding::<E, A>(m) == input@ && manager_wf(m) {
                        assert(input@[0] == (E::spec_prefix() + manager_encoding(m))[0]);
                        assert(input@[1] == (E::spec_prefix() + manager_encoding(m))[1]);
                        assert(input@[2] == (E::spec_prefix() + manager_encoding(m))[2]);
                        assert(input@[3] == (E::spec_prefix() + manager_encoding(m))[3]);
                        assert(input@.subrange(0, 4) =~= E::spec_prefix());
                    }
                };
            }
            return Err(NttError::UnrecognizedTransport);
        }
        proof {
            assert(input@.subrange(0, 4) =~= E::spec_prefix());
        }
        let inner = <ManagerMessage<A> as Payload>::read(input, 4);
        proof {
            assert forall|m: ManagerMessage<A>|
                #[trigger] endpoint_encoding::<E, A>(m) == input@ && manager_wf(m) implies (inner
                matches Ok(q) && q.1 == input@.len() && q.0.sequence == m.sequence && q.0.sender@
                == m.sender@ && q.0.payload.encoding() == m.payload.encoding()) by {
                assert(manager_encoding(m).len() == input@.len() - 4);
                assert forall|i: int| 0 <= i < input@.len() - 4 implies #[trigger] manager_encoding(
                    m,
                )[i] == input@[4 + i] by {
                    assert(input@[4 + i] == (E::spec_prefix() + manager_encoding(m))[4 + i]);
                };
                assert(manager_encoding(m) =~= input@.subrange(4, input@.len() as int));
                assert(m.encoding() == input@.subrange(4, input@.len() as int));
                assert(m.wf());
                assert(inner matches Ok(q2) && q2.1 == input@.len());
                let q = inner->Ok_0;
                assert(q.0.encoding() == input@.subrange(4, q.1 as int));
                assert(manager_encoding(q.0) == manager_encoding(m));
                lemma_manager_encoding_injective(q.0, m);
            };
        }
        match inner {
            Err(_) => Err(NttError::MalformedEncoding),
            Ok((m, end)) => Ok((EndpointMessage { message_data: m, endpoint: PhantomData }, end)),
        }
    }
}

} // verus!
