use vstd::prelude::*;

use crate::chain_id::ChainId;
use crate::error::NttError;
use crate::keccak::{keccak256_bytes, keccak256_of};
use crate::payload::{type_prefixed_encoding, Payload};
use crate::wire::{
    lemma_concat_subranges, lemma_u16_be_injective, lemma_u64_be_injective, push_bytes32,
    push_u16_be, push_u64_be, read_bytes32, read_u16_be, read_u64_be, u16_be, u64_be,
};

verus! {

/// Framing bytes a manager message adds around its payload body: 8 bytes of
/// sequence, 32 bytes of sender, 2 bytes of payload length.
pub const MANAGER_HEADER_LEN: usize = 42;

/// The sequenced, sender-addressed envelope around one payload: the unit
/// that is attested across chains. The sequence is assigned by the sender
/// and expected to be unique per sender; this layer only carries it.
#[derive(Debug, Clone, PartialEq, Eq)]
pub struct ManagerMessage<A> {
    pub sequence: u64,
    pub sender: [u8; 32],
    pub payload: A,
}

/// The wire encoding of a manager message: sequence as 8 bytes big-endian,
/// sender verbatim, the payload body's length as 2 bytes big-endian, then
/// the payload body.
pub open spec fn manager_encoding<A: Payload>(m: ManagerMessage<A>) -> Seq<u8> {
    u64_be(m.sequence) + m.sender@ + u16_be(m.payload.encoding().len() as u16)
        + m.payload.encoding()
}

/// A manager message whose payload is well formed and fits the 2-byte
/// length field.
pub open spec fn manager_wf<A: Payload>(m: ManagerMessage<A>) -> bool {
    m.payload.wf() && m.payload.encoding().len() <= 0xFFFF
}

/// The fields of a manager message are recoverable from any window of `t`
/// that holds its encoding: the encoding is injective.
pub proof fn lemma_manager_encoding_parts<A: Payload>(
    m: ManagerMessage<A>,
    t: Seq<u8>,
    from: int,
    to: int,
)
    requires
        0 <= from <= to <= t.len(),
        to - from == manager_encoding(m).len(),
        t.subrange(from, to) == manager_encoding(m),
    ensures
        u64_be(m.sequence) == t.subrange(from, from + 8),
        m.sender@ == t.subrange(from + 8, from + 40),
        u16_be(m.payload.encoding().len() as u16) == t.subrange(from + 40, from + 42),
        m.payload.encoding() == t.subrange(from + 42, to),
{
    let e = manager_encoding(m);
    assert(e.len() == 42 + m.payload.encoding().len());
    assert forall|i: int| 0 <= i < e.len() implies e[i] == t[from + i] by {
        assert(t.subrange(from, to)[i] == t[from + i]);
    };
    assert(u64_be(m.sequence) =~= t.subrange(from, from + 8)) by {
        assert forall|i: int| 0 <= i < 8 implies u64_be(m.sequence)[i] == t[from + i] by {
            assert(e[i] == u64_be(m.sequence)[i]);
        };
    };
    assert(m.sender@ =~= t.subrange(from + 8, from + 40)) by {
        assert forall|i: int| 0 <= i < 32 implies m.sender@[i] == t[from + 8 + i] by {
            assert(e[8 + i] == m.sender@[i]);
        };
    };
    assert(u16_be(m.payload.encoding().len() as u16) =~= t.subrange(from + 40, from + 42)) by {
        assert forall|i: int| 0 <= i < 2 implies #[trigger] u16_be(
            m.payload.encoding().len() as u16,
        )[i] == t[from + 40 + i] by {
            assert(e[40 + i] == u16_be(m.payload.encoding().len() as u16)[i]);
        };
    };
    assert(m.payload.encoding() =~= t.subrange(from + 42, to)) by {
        assert forall|i: int| 0 <= i < m.payload.encoding().len() implies m.payload.encoding()[i]
            == t[from + 42 + i] by {
            assert(e[42 + i] == m.payload.encoding()[i]);
        };
    };
}

impl<A: Payload> Payload for ManagerMessage<A> {
    open spec fn encoding(&self) -> Seq<u8> {
        manager_encoding(*self)
    }

    open spec fn wf(&self) -> bool {
        manager_wf(*self)
    }

    open spec fn spec_type_tag() -> Option<u8> {
        None
    }

    fn type_tag() -> Option<u8> {
        None
    }

    fn written_size(&self) -> usize {
        let p: usize = self.payload.written_size();
        MANAGER_HEADER_LEN + p
    }

    fn write(&self, out: &mut Vec<u8>) {
        push_u64_be(out, self.sequence);
        push_bytes32(out, &self.sender);
        let p: usize = self.payload.written_size();
        push_u16_be(out, p as u16);
        self.payload.write(out);
        proof {
            assert(out@ =~= old(out)@ + manager_encoding(*self));
        }
    }

    fn read(input: &Vec<u8>, from: usize) -> (r: Result<(Self, usize), NttError>) {
        let n: usize = input.len();
        if n - from < MANAGER_HEADER_LEN {
            proof {
                assert forall|p: ManagerMessage<A>|
                    !(#[trigger] p.encoding() == input@.subrange(from as int, input@.len() as int)
                        && p.wf()) by {
                    assert(manager_encoding(p).len() >= 42);
                    assert(input@.subrange(from as int, input@.len() as int).len() == n - from);
                };
            }
            return Err(NttError::MalformedEncoding);
        }
        let sequence: u64 = read_u64_be(input, from);
        let sender: [u8; 32] = read_bytes32(input, from + 8);
        let declared: u16 = read_u16_be(input, from + 40);
        let body_start: usize = from + 42;
        let inner = A::read(input, body_start);
        proof {
            assert forall|p: ManagerMessage<A>|
                #[trigger] p.encoding() == input@.subrange(from as int, input@.len() as int)
                    && p.wf() implies (inner matches Ok(q) && q.1 == input@.len()
                && q.0.encoding() == p.payload.encoding() && declared as int
                == p.payload.encoding().len()) by {
                assert(manager_encoding(p).len() == 42 + p.payload.encoding().len());
                lemma_manager_encoding_parts(p, input@, from as int, n as int);
                assert(p.payload.encoding() == input@.subrange(
                    body_start as int,
                    input@.len() as int,
                ));
                lemma_u16_be_injective(declared, p.payload.encoding().len() as u16);
            };
        }
        match inner {
            Err(_) => Err(NttError::MalformedEncoding),
            Ok((payload, end)) => {
                if end - body_start != declared as usize {
                    Err(NttError::MalformedEncoding)
                } else {
                    let m = ManagerMessage { sequence, sender, payload };
                    proof {
                        assert(m.payload.encoding().len() == end - body_start);
                        assert(m.payload.encoding().len() as u16 == declared);
                        lemma_concat_subranges(
                            input@,
                            from as int,
                            from + 8,
                            from + 40,
                            from + 42,
                            end as int,
                        );
                        assert(manager_encoding(m) == input@.subrange(from as int, end as int));
                    }
                    Ok((m, end))
                }
            },
        }
    }
}

/// The bytes the attestation digest covers: the target chain id as 2 bytes
/// big-endian followed by the type-prefixed manager-message encoding.
pub open spec fn manager_digest_input<A: Payload>(chain: u16, m: ManagerMessage<A>) -> Seq<u8> {
    u16_be(chain) + type_prefixed_encoding(m)
}

impl<A: Payload> ManagerMessage<A> {
    /// Serializes this message, failing with `PayloadTooLarge` exactly when
    /// the payload body exceeds the 65535 bytes the length field can carry;
    /// a payload of exactly 65535 bytes succeeds.
    pub fn encode(&self) -> (r: Result<Vec<u8>, NttError>)
        requires
            self.payload.wf(),
        ensures
            (match r {
                Ok(v) => self.payload.encoding().len() <= 0xFFFF && v@ == manager_encoding(*self),
                Err(e) => e == NttError::PayloadTooLarge && self.payload.encoding().len() > 0xFFFF,
            }),
    {
        let size: usize = self.payload.written_size();
        if size > 0xFFFF {
            return Err(NttError::PayloadTooLarge);
        }
        let mut out: Vec<u8> = Vec::new();
        self.write(&mut out);
        Ok(out)
    }

    /// Deserializes one manager message from the front of `input`, returning
    /// it with the position just past the bytes consumed. Decoding an exact
    /// encoding consumes it whole and gives back a message with the same
    /// sequence, sender, and payload body.
    pub fn decode(input: &Vec<u8>) -> (r: Result<(ManagerMessage<A>, usize), NttError>)
        ensures
            (match r {
                Ok(p) => manager_wf(p.0) && p.1 <= input@.len() && manager_encoding(p.0)
                    == input@.subrange(0, p.1 as int),
                Err(e) => e == NttError::MalformedEncoding,
            }),
            forall|m: ManagerMessage<A>|
                #[trigger] manager_encoding(m) == input@ && manager_wf(m) ==> (r matches Ok(q)
                    && q.1 == input@.len() && q.0.sequence == m.sequence && q.0.sender@ == m.sender@
                    && q.0.payload.encoding() == m.payload.encoding()),
    {
        let r = Self::read(input, 0);
        proof {
            assert(input@.subrange(0, input@.len() as int) =~= input@);
            assert forall|m: ManagerMessage<A>|
                #[trigger] manager_encoding(m) == input@ && manager_wf(m) implies (r matches Ok(q)
                && q.1 == input@.len() && q.0.sequence == m.sequence && q.0.sender@ == m.sender@
                && q.0.payload.encoding() == m.payload.encoding()) by {
                assert(m.encoding() == input@.subrange(0, input@.len() as int));
                assert(r matches Ok(q2) && q2.1 == input@.len());
                let q = r->Ok_0;
                assert(q.0.encoding() == input@.subrange(0, q.1 as int));
                assert(manager_encoding(q.0) == input@);
                lemma_manager_encoding_parts(m, input@, 0, input@.len() as int);
                lemma_manager_encoding_parts(q.0, input@, 0, input@.len() as int);
                lemma_u64_be_injective(q.0.sequence, m.sequence);
            };
        }
        r
    }

    /// The attestation digest: keccak-256 over the target chain id as 2
    /// bytes big-endian followed by this message's type-prefixed encoding.
    /// Binding the target chain into the hashed bytes keeps one message from
    /// being replayed as if addressed to a different chain.
    pub fn keccak256(&self, chain_id: ChainId) -> (r: [u8; 32])
        requires
            manager_wf(*self),
        ensures
            r@ == keccak256_of(manager_digest_input(chain_id.id, *self)),
    {
        let mut bytes: Vec<u8> = Vec::new();
        push_u16_be(&mut bytes, chain_id.id);
        self.write(&mut bytes);
        proof {
            assert(bytes@ =~= manager_digest_input(chain_id.id, *self));
        }
        keccak256_bytes(&bytes)
    }
}

/// Two manager messages with the same wire encoding agree on sequence,
/// sender, and payload body.
pub proof fn lemma_manager_encoding_injective<A: Payload>(
    m1: ManagerMessage<A>,
    m2: ManagerMessage<A>,
)
    requires
        manager_encoding(m1) == manager_encoding(m2),
    ensures
        m1.sequence == m2.sequence,
        m1.sender@ == m2.sender@,
        m1.payload.encoding() == m2.payload.encoding(),
{
    let t = manager_encoding(m1);
    assert(t.subrange(0, t.len() as int) =~= t);
    lemma_manager_encoding_parts(m1, t, 0, t.len() as int);
    lemma_manager_encoding_parts(m2, t, 0, t.len() as int);
    lemma_u64_be_injective(m1.sequence, m2.sequence);
}

/// Digest sensitivity: when two digest inputs coincide, the target chain,
/// sequence, sender, and payload body all coincide — so a difference in any
/// one of them changes the bytes that keccak-256 is computed over.
pub proof fn lemma_digest_input_injective<A: Payload>(
    c1: u16,
    m1: ManagerMessage<A>,
    c2: u16,
    m2: ManagerMessage<A>,
)
    requires
        manager_digest_input(c1, m1) == manager_digest_input(c2, m2),
    ensures
        c1 == c2,
        m1.sequence == m2.sequence,
        m1.sender@ == m2.sender@,
        m1.payload.encoding() == m2.payload.encoding(),
{
    let t = manager_digest_input(c1, m1);
    assert(u16_be(c1) =~= t.subrange(0, 2));
    assert(u16_be(c2) =~= t.subrange(0, 2));
    lemma_u16_be_injective(c1, c2);
    assert(manager_encoding(m1) =~= t.subrange(2, t.len() as int));
    assert(manager_encoding(m2) =~= t.subrange(2, t.len() as int));
    lemma_manager_encoding_injective(m1, m2);
}

} // verus!
