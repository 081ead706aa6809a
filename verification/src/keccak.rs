use vstd::prelude::*;

verus! {

/// The keccak-256 digest, 32 bytes, of a byte sequence. The digest is
/// computed by an outside implementation and depends on the input bytes
/// alone; nothing here states its value on given bytes.
pub uninterp spec fn keccak256_of(input: Seq<u8>) -> Seq<u8>;

/// Relies on solana_program::keccak::hash, the keccak-256 digest of the
/// input bytes, a pure function of the input; Hash::to_bytes unwraps the
/// 32-byte digest array.
#[verifier::external_body]
pub(crate) fn keccak256_bytes(input: &Vec<u8>) -> (r: [u8; 32])
    ensures
        r@ == keccak256_of(input@),
{
    solana_program::keccak::hash(input.as_slice()).to_bytes()
}

} // verus!
