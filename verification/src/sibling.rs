use vstd::prelude::*;

use crate::chain_id::ChainId;

verus! {

/// The single trusted remote-program identity registered for one source
/// chain.
#[derive(Debug, Clone, Copy)]
pub struct Sibling {
    pub chain: ChainId,
    pub address: [u8; 32],
}

/// The address registered for `chain` among `s`, scanning front to back.
pub open spec fn lookup_in(s: Seq<Sibling>, chain: u16) -> Option<Seq<u8>>
    decreases s.len(),
{
    if s.len() == 0 {
        None
    } else if s[0].chain.id == chain {
        Some(s[0].address@)
    } else {
        lookup_in(s.drop_first(), chain)
    }
}

/// No address is registered for `chain` exactly when no entry names it.
pub proof fn lemma_lookup_in_none(s: Seq<Sibling>, chain: u16)
    ensures
        lookup_in(s, chain) is None <==> (forall|i: int|
            0 <= i < s.len() ==> (#[trigger] s[i]).chain.id != chain),
    decreases s.len(),
{
    if s.len() > 0 {
        lemma_lookup_in_none(s.drop_first(), chain);
        assert forall|i: int| 0 <= i < s.drop_first().len() implies #[trigger] s.drop_first()[i]
            == s[i + 1] by {};
        if s[0].chain.id != chain && lookup_in(s.drop_first(), chain) is None {
            assert forall|i: int| 0 <= i < s.len() implies (#[trigger] s[i]).chain.id != chain by {
                if i > 0 {
                    assert(s.drop_first()[i - 1] == s[i]);
                }
            };
        }
    }
}

/// Appending an entry does not disturb the chains already registered, and
/// registers the new entry's chain if it was absent.
pub proof fn lemma_lookup_in_push(s: Seq<Sibling>, e: Sibling, chain: u16)
    ensures
        lookup_in(s, chain) is Some ==> lookup_in(s.push(e), chain) == lookup_in(s, chain),
        lookup_in(s, chain) is None && e.chain.id == chain ==> lookup_in(s.push(e), chain)
            == Some(e.address@),
        lookup_in(s, chain) is None && e.chain.id != chain ==> lookup_in(s.push(e), chain) is None,
    decreases s.len(),
{
    if s.len() == 0 {
        assert(s.push(e)[0] == e);
        assert(s.push(e).drop_first() =~= Seq::<Sibling>::empty());
        assert(lookup_in(Seq::<Sibling>::empty(), chain) is None);
    } else {
        assert(s.push(e)[0] == s[0]);
        assert(s.push(e).drop_first() =~= s.drop_first().push(e));
        lemma_lookup_in_push(s.drop_first(), e, chain);
    }
}

/// The per-source-chain allow-list of the one trusted remote program
/// address per chain. Populated by governance; read-only to the validator.
#[derive(Debug)]
pub struct SiblingRegistry {
    pub entries: Vec<Sibling>,
}

impl SiblingRegistry {
    /// Each chain is registered at most once.
    pub open spec fn wf(self) -> bool {
        forall|i: int, j: int|
            0 <= i < j < self.entries@.len() ==> (#[trigger] self.entries@[i]).chain.id != (
            #[trigger] self.entries@[j]).chain.id
    }

    /// The registered address for `chain`, if any.
    pub open spec fn spec_lookup(self, chain: u16) -> Option<Seq<u8>> {
        lookup_in(self.entries@, chain)
    }

    /// An empty registry: no chain has a sibling.
    pub fn new() -> (r: SiblingRegistry)
        ensures
            r.wf(),
            forall|c: u16| r.spec_lookup(c) is None,
    {
        SiblingRegistry { entries: Vec::new() }
    }

    /// Registers `sibling` as the trusted identity of its chain; the chain
    /// must not be registered yet. Every other chain's entry is untouched.
    pub fn register(&mut self, sibling: Sibling)
        requires
            old(self).wf(),
            old(self).spec_lookup(sibling.chain.id) is None,
        ensures
            final(self).wf(),
            final(self).spec_lookup(sibling.chain.id) == Some(sibling.address@),
            forall|c: u16|
                c != sibling.chain.id ==> final(self).spec_lookup(c) == old(self).spec_lookup(c),
    {
        proof {
            lemma_lookup_in_none(self.entries@, sibling.chain.id);
        }
        let ghost s = self.entries@;
        self.entries.push(sibling);
        proof {
            assert forall|c: u16| true implies #[trigger] lookup_in(self.entries@, c) == (if c
                == sibling.chain.id {
                Some(sibling.address@)
            } else {
                lookup_in(s, c)
            }) by {
                lemma_lookup_in_push(s, sibling, c);
                if c == sibling.chain.id {
                    assert(lookup_in(s, c) is None);
                }
            };
            assert forall|i: int, j: int| 0 <= i < j < self.entries@.len() implies (
            #[trigger] self.entries@[i]).chain.id != (#[trigger] self.entries@[j]).chain.id by {
                if j == s.len() {
                    assert(self.entries@[i] == s[i]);
                    assert(self.entries@[j] == sibling);
                }
            };
        }
    }

    /// Looks up the registered sibling address for `chain`.
    pub fn lookup(&self, chain: ChainId) -> (r: Option<[u8; 32]>)
        ensures
            (match r {
                Some(a) => self.spec_lookup(chain.id) == Some(a@),
                None => self.spec_lookup(chain.id) is None,
            }),
    {
        let n: usize = self.entries.len();
        let mut i: usize = 0;
        proof {
            assert(self.entries@.skip(0) =~= self.entries@);
        }
        while i < n
            invariant
                i <= n == self.entries@.len(),
                lookup_in(self.entries@, chain.id) == lookup_in(
                    self.entries@.skip(i as int),
                    chain.id,
                ),
            decreases n - i,
        {
            let e: Sibling = self.entries[i];
            proof {
                assert(self.entries@.skip(i as int)[0] == self.entries@[i as int]);
            }
            if e.chain.id == chain.id {
                return Some(e.address);
            }
            proof {
                assert(self.entries@.skip(i as int).drop_first() =~= self.entries@.skip(i + 1));
            }
            i = i + 1;
        }
        proof {
            assert(self.entries@.skip(n as int) =~= Seq::<Sibling>::empty());
        }
        None
    }
}

} // verus!
