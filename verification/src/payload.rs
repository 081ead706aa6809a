use vstd::prelude::*;

use crate::chain_id::ChainId;
use crate::error::NttError;
use crate::wire::{push_bytes, push_u16_be, read_rest, read_u16_be, u16_be};

verus! {

/// The codec contract every manager-message payload satisfies: an exact
/// serialized length, a writer that emits exactly that many bytes, a reader
/// that consumes exactly the bytes the writer emitted, and an optional
/// one-byte type tag used by multiplexed codecs to distinguish payload kinds
/// sharing a wire format.
pub trait Payload: Sized {
    /// The canonical serialized body of this payload, without any outer
    /// length prefix or type tag.
    spec fn encoding(&self) -> Seq<u8>;

    /// Structural validity, preserved by encoding and decoding.
    spec fn wf(&self) -> bool;

    /// The optional fixed one-byte type tag of this payload kind.
    spec fn spec_type_tag() -> Option<u8>;

    /// The type tag, as executable code reports it.
    fn type_tag() -> (t: Option<u8>)
        ensures
            t == Self::spec_type_tag(),
    ;

    /// The exact serialized length of this payload's body.
    fn written_size(&self) -> (n: usize)
        requires
            self.wf(),
        ensures
            n == self.encoding().len(),
    ;

    /// Appends this payload's body to `out`: exactly `written_size()` bytes.
    fn write(&self, out: &mut Vec<u8>)
        requires
            self.wf(),
        ensures
            final(out)@ == old(out)@ + self.encoding(),
    ;

    /// Reads one payload body from `input` beginning at `from`, returning the
    /// payload and the position just past the bytes it consumed, or
    /// `MalformedEncoding` on truncated or structurally invalid input.
    ///
    /// Decoding is sound: the result re-encodes to exactly the consumed
    /// bytes. It is also complete on exact input: when the remainder of
    /// `input` is precisely the encoding of some well-formed payload,
    /// decoding succeeds and consumes the remainder whole.
    fn read(input: &Vec<u8>, from: usize) -> (r: Result<(Self, usize), NttError>)
        requires
            from <= input@.len(),
        ensures
            (match r {
                Ok(p) => p.0.wf() && from <= p.1 <= input@.len() && p.0.encoding()
                    == input@.subrange(from as int, p.1 as int),
                Err(e) => e == NttError::MalformedEncoding,
            }),
            forall|p: Self|
                #[trigger] p.encoding() == input@.subrange(from as int, input@.len() as int)
                    && p.wf() ==> (r matches Ok(q) && q.1 == input@.len()),
    ;
}

/// The encoding preceded by the payload kind's type tag where it declares
/// one: the form a multiplexed codec frames and the attestation digest
/// covers.
pub open spec fn type_prefixed_encoding<A: Payload>(p: A) -> Seq<u8> {
    match A::spec_type_tag() {
        Some(t) => seq![t] + p.encoding(),
        None => p.encoding(),
    }
}

/// A payload that names the chain the transfer it carries is addressed to;
/// the receive validator reads this to reject messages meant for another
/// chain.
pub trait RoutedPayload: Payload {
    /// The target chain id carried inside the payload.
    spec fn spec_target_chain(&self) -> u16;

    /// Reads the target chain id out of the payload.
    fn target_chain(&self) -> (c: ChainId)
        ensures
            c.id == self.spec_target_chain(),
    ;
}

/// An opaque byte-string payload: its body is its bytes verbatim, and
/// decoding consumes the whole remainder of the input.
#[derive(Debug, Clone, PartialEq, Eq)]
pub struct BytesPayload {
    pub bytes: Vec<u8>,
}

impl Payload for BytesPayload {
    open spec fn encoding(&self) -> Seq<u8> {
        self.bytes@
    }

    open spec fn wf(&self) -> bool {
        true
    }

    open spec fn spec_type_tag() -> Option<u8> {
        None
    }

    fn type_tag() -> Option<u8> {
        None
    }

    fn written_size(&self) -> usize {
        self.bytes.len()
    }

    fn write(&self, out: &mut Vec<u8>) {
        push_bytes(out, &self.bytes);
    }

    fn read(input: &Vec<u8>, from: usize) -> Result<(Self, usize), NttError> {
        let n: usize = input.len();
        let bytes = read_rest(input, from);
        Ok((BytesPayload { bytes }, n))
    }
}

/// A transfer payload routed to a target chain: a 2-byte big-endian target
/// chain id followed by the transfer body, which decoding consumes whole.
#[derive(Debug, Clone, PartialEq, Eq)]
pub struct TransferPayload {
    pub to_chain: ChainId,
    pub body: Vec<u8>,
}

impl Payload for TransferPayload {
    open spec fn encoding(&self) -> Seq<u8> {
        u16_be(self.to_chain.id) + self.body@
    }

    open spec fn wf(&self) -> bool {
        self.body@.len() + 2 <= usize::MAX
    }

    open spec fn spec_type_tag() -> Option<u8> {
        None
    }

    fn type_tag() -> Option<u8> {
        None
    }

    fn written_size(&self) -> usize {
        2 + self.body.len()
    }

    fn write(&self, out: &mut Vec<u8>) {
        push_u16_be(out, self.to_chain.id);
        push_bytes(out, &self.body);
        proof {
            assert(out@ =~= old(out)@ + self.encoding());
        }
    }

    fn read(input: &Vec<u8>, from: usize) -> Result<(Self, usize), NttError> {
        let n: usize = input.len();
        if n - from < 2 {
            proof {
                assert forall|p: TransferPayload|
                    !(#[trigger] p.encoding() == input@.subrange(from as int, input@.len() as int)
                        && p.wf()) by {
                    assert(p.encoding().len() >= 2);
                    assert(input@.subrange(from as int, input@.len() as int).len() == n - from);
                };
            }
            return Err(NttError::MalformedEncoding);
        }
        let id: u16 = read_u16_be(input, from);
        let body = read_rest(input, from + 2);
        let p = TransferPayload { to_chain: ChainId { id }, body };
        proof {
            assert(p.encoding() =~= input@.subrange(from as int, n as int));
        }
        Ok((p, n))
    }
}

/// A byte-string payload is determined by its encoding: together with the
/// manager codec's completeness this closes the round trip, since a decoded
/// payload that re-encodes to the same bytes holds the same bytes.
pub proof fn lemma_bytes_payload_encoding_injective(p1: BytesPayload, p2: BytesPayload)
    requires
        p1.encoding() == p2.encoding(),
    ensures
        p1.bytes@ == p2.bytes@,
{
}

/// A transfer payload is determined by its encoding: same target chain and
/// same body.
pub proof fn lemma_transfer_payload_encoding_injective(p1: TransferPayload, p2: TransferPayload)
    requires
        p1.encoding() == p2.encoding(),
    ensures
        p1.to_chain == p2.to_chain,
        p1.body@ == p2.body@,
{
    let e = p1.encoding();
    assert(u16_be(p1.to_chain.id) =~= e.subrange(0, 2));
    assert(u16_be(p2.to_chain.id) =~= e.subrange(0, 2));
    crate::wire::lemma_u16_be_injective(p1.to_chain.id, p2.to_chain.id);
    assert(p1.body@ =~= e.subrange(2, e.len() as int));
    assert(p2.body@ =~= e.subrange(2, e.len() as int));
}

impl RoutedPayload for TransferPayload {
    open spec fn spec_target_chain(&self) -> u16 {
        self.to_chain.id
    }

    fn target_chain(&self) -> ChainId {
        self.to_chain
    }
}

} // verus!
