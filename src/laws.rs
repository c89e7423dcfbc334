//! Properties of the record format and of replaying a log.

use vstd::prelude::*;
use crate::codec::{
    crc32_ieee, decode_spec, encode_spec, lemma_decoded_len, lemma_encode_layout, record_len,
    KvError,
};
use crate::store::{lookup, replay, replay_outcome};

verus! {

/// Whether replaying `log` from `pos` decodes every record and stops exactly
/// at the end of the log.
pub open spec fn clean_from(log: Seq<u8>, pos: int) -> bool
    decreases log.len() - pos,
{
    match decode_spec(log, pos) {
        Ok(_) => clean_from(log, pos + record_len(log, pos)),
        Err(KvError::EndOfLog) => pos == log.len(),
        Err(_) => false,
    }
}

/// A log made of whole, intact records only.
pub open spec fn is_clean_log(log: Seq<u8>) -> bool {
    clean_from(log, 0)
}

/// A record placed anywhere in a log decodes to its key and value, and spans
/// exactly its encoding.
pub proof fn lemma_decode_encoded(prefix: Seq<u8>, key: Seq<u8>, value: Seq<u8>, suffix: Seq<u8>)
    requires
        key.len() <= u32::MAX,
        value.len() <= u32::MAX,
    ensures
        decode_spec(prefix + encode_spec(key, value) + suffix, prefix.len() as int) == Ok::<
            (Seq<u8>, Seq<u8>),
            KvError,
        >((key, value)),
        record_len(prefix + encode_spec(key, value) + suffix, prefix.len() as int)
            == encode_spec(key, value).len(),
{
    let e = encode_spec(key, value);
    let log = prefix + e + suffix;
    let p = prefix.len() as int;
    lemma_encode_layout(key, value);
    assert(log.subrange(p, p + 4) =~= e.subrange(0, 4));
    assert(log.subrange(p + 4, p + 8) =~= e.subrange(4, 8));
    assert(log.subrange(p + 8, p + 12) =~= e.subrange(8, 12));
    let data = log.subrange(p + 12, p + record_len(log, p));
    assert(data =~= e.subrange(12, e.len() as int));
    assert(data.subrange(0, key.len() as int) =~= key);
    assert(data.subrange(key.len() as int, data.len() as int) =~= value);
}

/// Decoding one record gives back the key and value it was encoded from.
pub proof fn law_round_trip(key: Seq<u8>, value: Seq<u8>)
    requires
        key.len() <= u32::MAX,
        value.len() <= u32::MAX,
    ensures
        decode_spec(encode_spec(key, value), 0) == Ok::<(Seq<u8>, Seq<u8>), KvError>((key, value)),
{
    lemma_decode_encoded(Seq::empty(), key, value, Seq::empty());
    assert(Seq::<u8>::empty() + encode_spec(key, value) + Seq::<u8>::empty() =~= encode_spec(
        key,
        value,
    ));
}

/// Flipping one bit of a record's key or value bytes makes decoding report
/// corruption, whenever the checksum of the altered bytes differs from that of
/// the original ones.
pub proof fn law_flipped_bit_is_corruption(key: Seq<u8>, value: Seq<u8>, i: int, bit: u8)
    requires
        key.len() <= u32::MAX,
        value.len() <= u32::MAX,
        0 <= i < key.len() + value.len(),
        bit < 8,
        crc32_ieee((key + value).update(i, (key + value)[i] ^ (1u8 << bit))) != crc32_ieee(
            key + value,
        ),
    ensures
        decode_spec(
            encode_spec(key, value).update(12 + i, encode_spec(key, value)[12 + i] ^ (1u8 << bit)),
            0,
        ) == Err::<(Seq<u8>, Seq<u8>), KvError>(KvError::Corruption),
{
    let e = encode_spec(key, value);
    let f = e.update(12 + i, e[12 + i] ^ (1u8 << bit));
    lemma_encode_layout(key, value);
    assert(f.subrange(0, 4) =~= e.subrange(0, 4));
    assert(f.subrange(4, 8) =~= e.subrange(4, 8));
    assert(f.subrange(8, 12) =~= e.subrange(8, 12));
    assert(record_len(f, 0) == record_len(e, 0));
    assert(e[12 + i] == (key + value)[i]);
    assert(f.subrange(12, f.len() as int) =~= (key + value).update(
        i,
        (key + value)[i] ^ (1u8 << bit),
    ));
}

/// Bytes appended after a record that decodes do not change how it decodes.
pub proof fn lemma_decode_extend(log: Seq<u8>, pos: int, extra: Seq<u8>)
    requires
        decode_spec(log, pos) is Ok,
    ensures
        decode_spec(log + extra, pos) == decode_spec(log, pos),
        record_len(log + extra, pos) == record_len(log, pos),
{
    lemma_decoded_len(log, pos);
    let big = log + extra;
    assert(big.subrange(pos, pos + 4) =~= log.subrange(pos, pos + 4));
    assert(big.subrange(pos + 4, pos + 8) =~= log.subrange(pos + 4, pos + 8));
    assert(big.subrange(pos + 8, pos + 12) =~= log.subrange(pos + 8, pos + 12));
    assert(big.subrange(pos + 12, pos + record_len(log, pos)) =~= log.subrange(
        pos + 12,
        pos + record_len(log, pos),
    ));
}

/// Appending a record to a clean log keeps it clean, and replaying it sets the
/// record's key to the record's offset on top of what the old log gave.
pub proof fn lemma_replay_append(
    log: Seq<u8>,
    pos: int,
    m: Map<Seq<u8>, int>,
    key: Seq<u8>,
    value: Seq<u8>,
)
    requires
        key.len() <= u32::MAX,
        value.len() <= u32::MAX,
        0 <= pos <= log.len(),
        clean_from(log, pos),
    ensures
        clean_from(log + encode_spec(key, value), pos),
        replay_outcome(log + encode_spec(key, value), pos) == Ok::<(), KvError>(()),
        replay(log + encode_spec(key, value), pos, m) == replay(log, pos, m).insert(
            key,
            log.len() as int,
        ),
    decreases log.len() - pos,
{
    let e = encode_spec(key, value);
    let big = log + e;
    if pos == log.len() {
        lemma_decode_encoded(log, key, value, Seq::empty());
        assert(log + e + Seq::<u8>::empty() =~= big);
        let next = pos + record_len(big, pos);
        assert(next == big.len());
        assert(decode_spec(big, next) is Err);
        assert(replay(big, next, m.insert(key, pos)) == m.insert(key, pos));
        assert(clean_from(big, next));
        assert(replay_outcome(big, next) == Ok::<(), KvError>(()));
    } else {
        if decode_spec(log, pos) is Ok {
            lemma_decode_extend(log, pos, e);
            lemma_decoded_len(log, pos);
            let kv = decode_spec(log, pos)->Ok_0;
            let next = pos + record_len(log, pos);
            lemma_replay_append(log, next, m.insert(kv.0, pos), key, value);
        }
    }
}

/// Replaying a log on top of an index gives that index overridden by what the
/// log alone gives.
pub proof fn lemma_replay_overrides(log: Seq<u8>, pos: int, m: Map<Seq<u8>, int>)
    ensures
        replay(log, pos, m) == m.union_prefer_right(replay(log, pos, Map::empty())),
    decreases log.len() - pos,
{
    match decode_spec(log, pos) {
        Ok(kv) => {
            lemma_decoded_len(log, pos);
            let next = pos + record_len(log, pos);
            lemma_replay_overrides(log, next, m.insert(kv.0, pos));
            lemma_replay_overrides(log, next, Map::empty().insert(kv.0, pos));
            let r = replay(log, next, Map::empty());
            assert(m.insert(kv.0, pos).union_prefer_right(r) =~= m.union_prefer_right(
                Map::empty().insert(kv.0, pos).union_prefer_right(r),
            ));
        },
        Err(_) => {
            assert(m.union_prefer_right(Map::empty()) =~= m);
        },
    }
}

/// Loading a log a second time, with no write in between, leaves the index
/// as the first load left it.
pub proof fn law_load_idempotent(log: Seq<u8>, m: Map<Seq<u8>, int>)
    ensures
        replay(log, 0, replay(log, 0, m)) == replay(log, 0, m),
{
    let r = replay(log, 0, Map::empty());
    lemma_replay_overrides(log, 0, m);
    lemma_replay_overrides(log, 0, replay(log, 0, m));
    assert(m.union_prefer_right(r).union_prefer_right(r) =~= m.union_prefer_right(r));
}

/// Writing `key` twice to a clean log, then replaying it from scratch, finds
/// the second value, at the offset of the second record.
pub proof fn law_last_writer_wins(log: Seq<u8>, key: Seq<u8>, first: Seq<u8>, second: Seq<u8>)
    requires
        is_clean_log(log),
        key.len() <= u32::MAX,
        first.len() <= u32::MAX,
        second.len() <= u32::MAX,
    ensures
        ({
            let written = log + encode_spec(key, first) + encode_spec(key, second);
            &&& replay_outcome(written, 0) == Ok::<(), KvError>(())
            &&& replay(written, 0, Map::empty())[key] == log.len() + encode_spec(key, first).len()
            &&& lookup(written, replay(written, 0, Map::empty()), key) == Ok::<
                Option<Seq<u8>>,
                KvError,
            >(Some(second))
        }),
{
    let once = log + encode_spec(key, first);
    let written = once + encode_spec(key, second);
    lemma_replay_append(log, 0, Map::empty(), key, first);
    lemma_replay_append(once, 0, Map::empty(), key, second);
    lemma_decode_encoded(once, key, second, Seq::empty());
    assert(once + encode_spec(key, second) + Seq::<u8>::empty() =~= written);
}

/// A log of one intact record followed by part of another loads cleanly and
/// indexes the first record only.
pub proof fn law_truncated_tail_dropped(
    key: Seq<u8>,
    value: Seq<u8>,
    next_key: Seq<u8>,
    next_value: Seq<u8>,
    cut: int,
)
    requires
        key.len() <= u32::MAX,
        value.len() <= u32::MAX,
        next_key.len() <= u32::MAX,
        next_value.len() <= u32::MAX,
        0 < cut < encode_spec(next_key, next_value).len(),
    ensures
        ({
            let log = encode_spec(key, value) + encode_spec(next_key, next_value).subrange(0, cut);
            &&& replay_outcome(log, 0) == Ok::<(), KvError>(())
            &&& replay(log, 0, Map::empty()) == Map::<Seq<u8>, int>::empty().insert(key, 0)
        }),
{
    let e = encode_spec(key, value);
    let full = encode_spec(next_key, next_value);
    let tail = full.subrange(0, cut);
    let log = e + tail;
    lemma_decode_encoded(Seq::empty(), key, value, tail);
    assert(Seq::<u8>::empty() + e + tail =~= log);
    let p = e.len() as int;
    lemma_encode_layout(next_key, next_value);
    if cut >= 12 {
        assert(log.subrange(p + 4, p + 8) =~= full.subrange(4, 8));
        assert(log.subrange(p + 8, p + 12) =~= full.subrange(8, 12));
        assert(record_len(log, p) == record_len(full, 0));
    }
    assert(decode_spec(log, p) == Err::<(Seq<u8>, Seq<u8>), KvError>(KvError::TruncatedRecord));
    let m = Map::<Seq<u8>, int>::empty().insert(key, 0);
    assert(record_len(log, 0) == p);
    assert(replay(log, p, m) == m);
    assert(replay(log, 0, Map::empty()) == replay(log, p, m));
    assert(replay_outcome(log, p) == Ok::<(), KvError>(()));
}

/// A lookup in an empty index finds nothing, whatever the log holds.
pub proof fn law_empty_index_finds_nothing(log: Seq<u8>, key: Seq<u8>)
    ensures
        lookup(log, Map::empty(), key) == Ok::<Option<Seq<u8>>, KvError>(None),
{
}

} // verus!
