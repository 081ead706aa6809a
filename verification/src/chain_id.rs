use vstd::prelude::*;

verus! {

/// A 16-bit numeric identifier of a blockchain, immutable and compared by
/// value.
#[derive(Clone, Copy, Debug, PartialEq, Eq, Structural)]
pub struct ChainId {
    pub id: u16,
}

} // verus!
