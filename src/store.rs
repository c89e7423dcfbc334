//! The store: a log of records and an index of each key's latest record.

use vstd::prelude::*;
use crate::codec::{
    decode, decode_spec, encode, encode_spec, lemma_decoded_len, lemma_encode_layout, push_all, record_len,
    KeyValuePair, KvError, HEADER_LEN,
};
use crate::index::Index;

verus! {

/// The index that replaying `log` from `pos` builds on top of `m`: each
/// record sets its key to its own offset, and the scan stops at the first
/// record that does not decode.
pub open spec fn replay(log: Seq<u8>, pos: int, m: Map<Seq<u8>, int>) -> Map<Seq<u8>, int>
    decreases log.len() - pos,
{
    match decode_spec(log, pos) {
        Ok(kv) => replay(log, pos + record_len(log, pos), m.insert(kv.0, pos)),
        Err(_) => m,
    }
}

/// How replaying `log` from `pos` ends: in an error only at a corrupt record;
/// the end of the log and a truncated tail are a clean stop.
pub open spec fn replay_outcome(log: Seq<u8>, pos: int) -> Result<(), KvError>
    decreases log.len() - pos,
{
    match decode_spec(log, pos) {
        Ok(_) => replay_outcome(log, pos + record_len(log, pos)),
        Err(KvError::Corruption) => Err(KvError::Corruption),
        Err(_) => Ok(()),
    }
}

/// What a lookup of `key` returns, given the log and the index.
pub open spec fn lookup(log: Seq<u8>, index: Map<Seq<u8>, int>, key: Seq<u8>) -> Result<
    Option<Seq<u8>>,
    KvError,
> {
    if !index.contains_key(key) {
        Ok(None)
    } else {
        match decode_spec(log, index[key]) {
            Ok(kv) => Ok(Some(kv.1)),
            Err(_) => Err(KvError::Corruption),
        }
    }
}

/// Where a store stands in its life.
#[derive(Debug, Clone, Copy, PartialEq, Eq, Structural)]
pub enum StoreState {
    /// Opened; the log has not been replayed.
    OpenEmpty,
    /// The last replay ran to a clean stop.
    Loaded,
    /// The last replay stopped at a corrupt record.
    Corrupted,
}

/// A key-value store over an append-only log.
pub struct ActionKV {
    log: Vec<u8>,
    index: Index,
    state: StoreState,
}

impl ActionKV {
    /// The bytes of the log.
    pub closed spec fn log_view(&self) -> Seq<u8> {
        self.log@
    }

    /// The index, from key to the offset of a record of that key.
    pub closed spec fn index_view(&self) -> Map<Seq<u8>, int> {
        self.index@
    }

    /// Where the store stands.
    pub closed spec fn state_view(&self) -> StoreState {
        self.state
    }

    pub closed spec fn wf(&self) -> bool {
        self.index.wf()
    }

    /// A store over the log `log`, with an empty index; the log is not read.
    pub fn open(log: Vec<u8>) -> (r: ActionKV)
        ensures
            r.wf(),
            r.log_view() == log@,
            r.index_view() == Map::<Seq<u8>, int>::empty(),
            r.state_view() == StoreState::OpenEmpty,
    {
        ActionKV { log, index: Index::new(), state: StoreState::OpenEmpty }
    }

    /// Where the store stands.
    pub fn state(&self) -> (r: StoreState)
        ensures
            r == self.state_view(),
    {
        self.state
    }

    /// The bytes of the log.
    pub fn log(&self) -> (r: &[u8])
        ensures
            r@ == self.log_view(),
    {
        self.log.as_slice()
    }

    /// The index.
    pub fn index(&self) -> (r: &Index)
        requires
            self.wf(),
        ensures
            r.wf(),
            r@ == self.index_view(),
    {
        &self.index
    }

    /// Decodes the record that starts at `position` of `log` (see `decode`).
    pub fn process_record(log: &[u8], position: usize) -> (r: Result<KeyValuePair, KvError>)
        ensures
            match r {
                Ok(kv) => decode_spec(log@, position as int) == Ok::<
                    (Seq<u8>, Seq<u8>),
                    KvError,
                >(kv@),
                Err(e) => decode_spec(log@, position as int) == Err::<
                    (Seq<u8>, Seq<u8>),
                    KvError,
                >(e),
            },
    {
        decode(log, position)
    }

    /// Replays the whole log from its start, setting each record's key to the
    /// record's offset. A truncated tail ends the scan cleanly; a corrupt record
    /// ends it with `Corruption`, keeping what was indexed before it.
    pub fn load(&mut self) -> (r: Result<(), KvError>)
        requires
            old(self).wf(),
        ensures
            final(self).wf(),
            final(self).log_view() == old(self).log_view(),
            final(self).index_view() == replay(old(self).log_view(), 0, old(self).index_view()),
            r == replay_outcome(old(self).log_view(), 0),
            final(self).state_view() == (if r is Ok {
                StoreState::Loaded
            } else {
                StoreState::Corrupted
            }),
    {
        let ghost log = self.log@;
        let ghost start = self.index@;
        let mut position: usize = 0;
        let log_len: usize = self.log.len();
        loop
            invariant
                self.wf(),
                log == old(self).log@,
                start == old(self).index@,
                self.log@ == log,
                log.len() == log_len,
                position <= log.len(),
                replay(log, 0, start) == replay(log, position as int, self.index@),
                replay_outcome(log, 0) == replay_outcome(log, position as int),
            decreases log.len() - position,
        {
            match decode(self.log.as_slice(), position) {
                Ok(kv) => {
                    proof {
                        lemma_decoded_len(log, position as int);
                        assert(kv@ == decode_spec(log, position as int)->Ok_0);
                    }
                    self.index.set(kv.key.as_slice(), position as u64);
                    position = position + HEADER_LEN + kv.key.len() + kv.value.len();
                },
                Err(KvError::Corruption) => {
                    self.state = StoreState::Corrupted;
                    return Err(KvError::Corruption);
                },
                Err(_) => {
                    self.state = StoreState::Loaded;
                    return Ok(());
                },
            }
        }
    }

    /// Decodes the record at `position`, as an indexed read: every failure,
    /// truncation included, is reported.
    pub fn get_at(&self, position: u64) -> (r: Result<KeyValuePair, KvError>)
        ensures
            match r {
                Ok(kv) => decode_spec(self.log_view(), position as int) == Ok::<
                    (Seq<u8>, Seq<u8>),
                    KvError,
                >(kv@),
                Err(e) => decode_spec(self.log_view(), position as int) == Err::<
                    (Seq<u8>, Seq<u8>),
                    KvError,
                >(e),
            },
    {
        if position >= self.log.len() as u64 {
            return Err(KvError::EndOfLog);
        }
        decode(self.log.as_slice(), position as usize)
    }

    /// The value of the latest indexed record of `key`, or `None` if the key is
    /// not indexed. A record that no longer decodes gives `Corruption`.
    pub fn get(&self, key: &[u8]) -> (r: Result<Option<Vec<u8>>, KvError>)
        requires
            self.wf(),
        ensures
            match r {
                Ok(Some(v)) => lookup(self.log_view(), self.index_view(), key@) == Ok::<
                    Option<Seq<u8>>,
                    KvError,
                >(Some(v@)),
                Ok(None) => lookup(self.log_view(), self.index_view(), key@) == Ok::<
                    Option<Seq<u8>>,
                    KvError,
                >(None),
                Err(e) => lookup(self.log_view(), self.index_view(), key@) == Err::<
                    Option<Seq<u8>>,
                    KvError,
                >(e),
            },
    {
        let position = match self.index.get(key) {
            None => return Ok(None),
            Some(position) => position,
        };
        match self.get_at(position) {
            Ok(kv) => Ok(Some(kv.value)),
            Err(_) => Err(KvError::Corruption),
        }
    }

    /// Appends the record of `key` and `value` at the end of the log, leaving
    /// the index as it is; returns the record's offset.
    pub fn insert_but_ignore_index(&mut self, key: &[u8], value: &[u8]) -> (r: u64)
        requires
            key@.len() <= u32::MAX,
            value@.len() <= u32::MAX,
            old(self).log_view().len() + HEADER_LEN + key@.len() + value@.len() <= usize::MAX,
        ensures
            r == old(self).log_view().len(),
            final(self).log_view() == old(self).log_view() + encode_spec(key@, value@),
            final(self).log_view().len() == old(self).log_view().len() + HEADER_LEN + key@.len()
                + value@.len(),
            final(self).index_view() == old(self).index_view(),
            final(self).state_view() == old(self).state_view(),
            final(self).wf() == old(self).wf(),
    {
        let position = self.log.len() as u64;
        let record = encode(key, value);
        proof {
            lemma_encode_layout(key@, value@);
        }
        push_all(&mut self.log, record.as_slice());
        position
    }

    /// Appends the record of `key` and `value` and points the index at it;
    /// returns the record's offset, which is the log's length before the call.
    pub fn insert(&mut self, key: &[u8], value: &[u8]) -> (r: u64)
        requires
            old(self).wf(),
            key@.len() <= u32::MAX,
            value@.len() <= u32::MAX,
            old(self).log_view().len() + HEADER_LEN + key@.len() + value@.len() <= usize::MAX,
        ensures
            final(self).wf(),
            r == old(self).log_view().len(),
            final(self).log_view() == old(self).log_view() + encode_spec(key@, value@),
            final(self).log_view().len() == old(self).log_view().len() + HEADER_LEN + key@.len()
                + value@.len(),
            final(self).index_view() == old(self).index_view().insert(key@, r as int),
            final(self).state_view() == old(self).state_view(),
    {
        let position = self.insert_but_ignore_index(key, value);
        self.index.set(key, position);
        position
    }
}

} // verus!
