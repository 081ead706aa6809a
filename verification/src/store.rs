use vstd::prelude::*;

use crate::chain_id::ChainId;
use crate::error::NttError;
use crate::manager::ManagerMessage;
use crate::payload::Payload;

verus! {

/// A message accepted by the validator, persisted exactly once per
/// (source chain, sequence) key and immutable afterwards within this
/// layer's responsibility.
#[derive(Debug)]
pub struct ValidatedEndpointMessage<A> {
    pub from_chain: ChainId,
    pub message: ManagerMessage<A>,
}

/// What one persisted record holds, stated over plain values.
pub ghost struct MessageRecord {
    pub from_chain: u16,
    pub sequence: u64,
    pub sender: Seq<u8>,
    pub payload: Seq<u8>,
}

/// The record derived from one validated message.
pub open spec fn record_view<A: Payload>(v: ValidatedEndpointMessage<A>) -> MessageRecord {
    MessageRecord {
        from_chain: v.from_chain.id,
        sequence: v.message.sequence,
        sender: v.message.sender@,
        payload: v.message.payload.encoding(),
    }
}

/// The store key a validated message is recorded under.
pub open spec fn record_key<A: Payload>(v: ValidatedEndpointMessage<A>) -> (u16, u64) {
    (v.from_chain.id, v.message.sequence)
}

/// The map held by a sequence of records.
pub open spec fn contents_of<A: Payload>(s: Seq<ValidatedEndpointMessage<A>>) -> Map<
    (u16, u64),
    MessageRecord,
>
    decreases s.len(),
{
    if s.len() == 0 {
        Map::empty()
    } else {
        contents_of(s.drop_last()).insert(record_key(s.last()), record_view(s.last()))
    }
}

/// A key is present exactly when some record carries it.
pub proof fn lemma_contents_key<A: Payload>(s: Seq<ValidatedEndpointMessage<A>>, k: (u16, u64))
    ensures
        contents_of(s).contains_key(k) <==> (exists|i: int|
            0 <= i < s.len() && record_key(#[trigger] s[i]) == k),
    decreases s.len(),
{
    if s.len() > 0 {
        lemma_contents_key(s.drop_last(), k);
        if contents_of(s).contains_key(k) {
            if record_key(s.last()) == k {
                assert(record_key(s[s.len() - 1]) == k);
            } else {
                let i = choose|i: int|
                    0 <= i < s.drop_last().len() && record_key(#[trigger] s.drop_last()[i]) == k;
                assert(s.drop_last()[i] == s[i]);
            }
        }
        if exists|i: int| 0 <= i < s.len() && record_key(#[trigger] s[i]) == k {
            let i = choose|i: int| 0 <= i < s.len() && record_key(#[trigger] s[i]) == k;
            if i < s.len() - 1 {
                assert(s.drop_last()[i] == s[i]);
            }
        }
    }
}

/// Under distinct keys, the map sends each record's key to that record.
pub proof fn lemma_contents_at<A: Payload>(s: Seq<ValidatedEndpointMessage<A>>, i: int)
    requires
        forall|a: int, b: int|
            0 <= a < b < s.len() ==> record_key(#[trigger] s[a]) != record_key(#[trigger] s[b]),
        0 <= i < s.len(),
    ensures
        contents_of(s).contains_key(record_key(s[i])),
        contents_of(s)[record_key(s[i])] == record_view(s[i]),
    decreases s.len(),
{
    if i == s.len() - 1 {
        assert(s.last() == s[i]);
    } else {
        assert forall|a: int, b: int| 0 <= a < b < s.drop_last().len() implies record_key(
            #[trigger] s.drop_last()[a],
        ) != record_key(#[trigger] s.drop_last()[b]) by {
            assert(s.drop_last()[a] == s[a]);
            assert(s.drop_last()[b] == s[b]);
        };
        lemma_contents_at(s.drop_last(), i);
        assert(s.drop_last()[i] == s[i]);
        assert(record_key(s[i]) != record_key(s.last()));
    }
}

/// The keyed, create-once persistence of accepted messages: the sole
/// mutation point of the receive path, offering atomic create-if-absent.
#[derive(Debug)]
pub struct ValidatedMessageStore<A> {
    pub entries: Vec<ValidatedEndpointMessage<A>>,
}

impl<A: Payload> ValidatedMessageStore<A> {
    /// Each (chain, sequence) key is recorded at most once: the
    /// replay-protection invariant.
    pub open spec fn wf(self) -> bool {
        forall|a: int, b: int|
            0 <= a < b < self.entries@.len() ==> record_key(#[trigger] self.entries@[a])
                != record_key(#[trigger] self.entries@[b])
    }

    /// The records held, keyed by (source chain, sequence).
    pub open spec fn contents(self) -> Map<(u16, u64), MessageRecord> {
        contents_of(self.entries@)
    }

    /// An empty store.
    pub fn new() -> (r: ValidatedMessageStore<A>)
        ensures
            r.wf(),
            r.contents() == Map::<(u16, u64), MessageRecord>::empty(),
    {
        ValidatedMessageStore { entries: Vec::new() }
    }

    /// Whether a record exists at key (chain, sequence).
    pub fn contains(&self, chain: ChainId, sequence: u64) -> (b: bool)
        ensures
            b == self.contents().contains_key((chain.id, sequence)),
    {
        let ghost k = (chain.id, sequence);
        let n: usize = self.entries.len();
        let mut i: usize = 0;
        while i < n
            invariant
                i <= n == self.entries@.len(),
                forall|j: int| 0 <= j < i ==> record_key(#[trigger] self.entries@[j]) != k,
                k == (chain.id, sequence),
            decreases n - i,
        {
            let e = &self.entries[i];
            if e.from_chain.id == chain.id && e.message.sequence == sequence {
                proof {
                    lemma_contents_key(self.entries@, k);
                    assert(record_key(self.entries@[i as int]) == k);
                }
                return true;
            }
            i = i + 1;
        }
        proof {
            lemma_contents_key(self.entries@, k);
        }
        false
    }

    /// The record stored at (chain, sequence), if any.
    pub fn get(&self, chain: ChainId, sequence: u64) -> (r: Option<&ValidatedEndpointMessage<A>>)
        requires
            self.wf(),
        ensures
            (match r {
                Some(v) => self.contents().contains_key((chain.id, sequence)) && record_key(*v) == (
                chain.id,
                sequence,
                ) && record_view(*v) == self.contents()[(chain.id, sequence)],
                None => !self.contents().contains_key((chain.id, sequence)),
            }),
    {
        let ghost k = (chain.id, sequence);
        let n: usize = self.entries.len();
        let mut i: usize = 0;
        while i < n
            invariant
                i <= n == self.entries@.len(),
                self.wf(),
                forall|j: int| 0 <= j < i ==> record_key(#[trigger] self.entries@[j]) != k,
                k == (chain.id, sequence),
            decreases n - i,
        {
            let e = &self.entries[i];
            if e.from_chain.id == chain.id && e.message.sequence == sequence {
                proof {
                    lemma_contents_at(self.entries@, i as int);
                }
                return Some(e);
            }
            i = i + 1;
        }
        proof {
            lemma_contents_key(self.entries@, k);
        }
        None
    }

    /// Atomic create-if-absent, the sole replay-protection mechanism:
    /// records `v` at its key, unless a record already exists there — then
    /// nothing is mutated, the existing record is preserved verbatim, and
    /// the caller learns of the duplicate.
    pub fn create_if_absent(&mut self, v: ValidatedEndpointMessage<A>) -> (r: Result<(), NttError>)
        requires
            old(self).wf(),
        ensures
            final(self).wf(),
            (match r {
                Ok(()) => !old(self).contents().contains_key(record_key(v))
                    && final(self).contents() == old(self).contents().insert(
                    record_key(v),
                    record_view(v),
                ),
                Err(e) => e == NttError::DuplicateMessage && old(self).contents().contains_key(
                    record_key(v),
                ) && final(self).contents() == old(self).contents(),
            }),
    {
        if self.contains(v.from_chain, v.message.sequence) {
            return Err(NttError::DuplicateMessage);
        }
        let ghost s = self.entries@;
        proof {
            lemma_contents_key(s, record_key(v));
        }
        self.entries.push(v);
        proof {
            assert(self.entries@.drop_last() =~= s);
            assert(self.entries@.last() == v);
            assert forall|a: int, b: int| 0 <= a < b < self.entries@.len() implies record_key(
                #[trigger] self.entries@[a],
            ) != record_key(#[trigger] self.entries@[b]) by {
                if b == s.len() {
                    assert(self.entries@[a] == s[a]);
                    assert(self.entries@[b] == v);
                }
            };
        }
        Ok(())
    }
}

} // verus!
