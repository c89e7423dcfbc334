//! The on-disk record format:
//! `checksum:u32-LE | key_len:u32-LE | val_len:u32-LE | key | value`,
//! where the checksum is the IEEE CRC-32 of `key ++ value`.

use vstd::prelude::*;
use byteorder::{ByteOrder, LittleEndian};

verus! {

/// Length of a record header: checksum, key length and value length.
pub const HEADER_LEN: usize = 12;

/// Why a record could not be decoded.
#[derive(Debug, Clone, Copy, PartialEq, Eq, Structural)]
pub enum KvError {
    /// The stream ends exactly at a record boundary.
    EndOfLog,
    /// The stream ends in the middle of a record.
    TruncatedRecord,
    /// A complete record whose stored checksum does not match its data.
    Corruption,
}

/// One decoded record.
#[derive(Debug)]
pub struct KeyValuePair {
    pub key: Vec<u8>,
    pub value: Vec<u8>,
}

impl View for KeyValuePair {
    type V = (Seq<u8>, Seq<u8>);

    open spec fn view(&self) -> (Seq<u8>, Seq<u8>) {
        (self.key@, self.value@)
    }
}

/// The IEEE CRC-32 of a byte sequence.
pub uninterp spec fn crc32_ieee(data: Seq<u8>) -> u32;

/// The integer that four bytes hold in little-endian order.
pub open spec fn le_u32(b: Seq<u8>) -> int {
    b[0] as int + 256 * (b[1] as int) + 65536 * (b[2] as int) + 16777216 * (b[3] as int)
}

/// The four little-endian bytes of `n`.
pub open spec fn u32_le(n: u32) -> Seq<u8> {
    seq![(n % 256) as u8, ((n / 256) % 256) as u8, ((n / 65536) % 256) as u8, (n / 16777216) as u8]
}

/// The bytes of one record holding `key` and `value`.
#[verifier::opaque]
pub open spec fn encode_spec(key: Seq<u8>, value: Seq<u8>) -> Seq<u8> {
    u32_le(crc32_ieee(key + value)) + u32_le(key.len() as u32) + u32_le(value.len() as u32) + key
        + value
}

/// Where the parts of an encoded record lie.
pub proof fn lemma_encode_layout(key: Seq<u8>, value: Seq<u8>)
    requires
        key.len() <= u32::MAX,
        value.len() <= u32::MAX,
    ensures
        encode_spec(key, value).len() == 12 + key.len() + value.len(),
        field_at(encode_spec(key, value), 0) == crc32_ieee(key + value),
        field_at(encode_spec(key, value), 4) == key.len(),
        field_at(encode_spec(key, value), 8) == value.len(),
        encode_spec(key, value).subrange(12, encode_spec(key, value).len() as int) == key + value,
{
    reveal(encode_spec);
    let e = encode_spec(key, value);
    lemma_le_u32_of_bytes(crc32_ieee(key + value));
    lemma_le_u32_of_bytes(key.len() as u32);
    lemma_le_u32_of_bytes(value.len() as u32);
    assert(e.subrange(0, 4) =~= u32_le(crc32_ieee(key + value)));
    assert(e.subrange(4, 8) =~= u32_le(key.len() as u32));
    assert(e.subrange(8, 12) =~= u32_le(value.len() as u32));
    assert(e.subrange(12, e.len() as int) =~= key + value);
}

/// The header field of four bytes at `at`.
pub open spec fn field_at(log: Seq<u8>, at: int) -> int {
    le_u32(log.subrange(at, at + 4))
}

/// Size in bytes of the record whose header starts at `pos`.
pub open spec fn record_len(log: Seq<u8>, pos: int) -> int {
    12 + field_at(log, pos + 4) + field_at(log, pos + 8)
}

/// What decoding the record that starts at `pos` yields.
pub open spec fn decode_spec(log: Seq<u8>, pos: int) -> Result<(Seq<u8>, Seq<u8>), KvError> {
    if pos < 0 || pos >= log.len() {
        Err(KvError::EndOfLog)
    } else if pos + 12 > log.len() {
        Err(KvError::TruncatedRecord)
    } else if pos + record_len(log, pos) > log.len() {
        Err(KvError::TruncatedRecord)
    } else {
        let k = field_at(log, pos + 4);
        let data = log.subrange(pos + 12, pos + record_len(log, pos));
        if crc32_ieee(data) as int != field_at(log, pos) {
            Err(KvError::Corruption)
        } else {
            Ok((data.subrange(0, k), data.subrange(k, data.len() as int)))
        }
    }
}

/// A record that decodes lies within the log, and its key and value fill it.
pub proof fn lemma_decoded_len(log: Seq<u8>, pos: int)
    requires
        decode_spec(log, pos) is Ok,
    ensures
        0 <= pos < log.len(),
        12 <= record_len(log, pos),
        pos + record_len(log, pos) <= log.len(),
        decode_spec(log, pos)->Ok_0.0.len() == field_at(log, pos + 4),
        record_len(log, pos) == 12 + decode_spec(log, pos)->Ok_0.0.len()
            + decode_spec(log, pos)->Ok_0.1.len(),
{
    let a = log.subrange(pos + 4, pos + 8);
    let b = log.subrange(pos + 8, pos + 12);
    assert(field_at(log, pos + 4) == le_u32(a));
    assert(field_at(log, pos + 8) == le_u32(b));
    assert(le_u32(a) >= 0 && le_u32(b) >= 0);
}

/// Relies on crc::crc32::checksum_ieee: the IEEE CRC-32 of `buf[from..to]`.
#[verifier::external_body]
fn checksum(buf: &[u8], from: usize, to: usize) -> (r: u32)
    requires
        from <= to <= buf@.len(),
    ensures
        r == crc32_ieee(buf@.subrange(from as int, to as int)),
{
    crc::crc32::checksum_ieee(&buf[from..to])
}

/// Relies on byteorder's LittleEndian::read_u32: the little-endian `u32` in `buf[at..at + 4]`.
#[verifier::external_body]
fn read_le_u32(buf: &[u8], at: usize) -> (r: u32)
    requires
        at + 4 <= buf@.len(),
    ensures
        r as int == le_u32(buf@.subrange(at as int, at + 4)),
{
    LittleEndian::read_u32(&buf[at..])
}

/// Relies on byteorder's LittleEndian::write_u32: the four little-endian bytes of `n`.
#[verifier::external_body]
fn le_bytes_u32(n: u32) -> (r: [u8; 4])
    ensures
        r@ == u32_le(n),
{
    let mut b = [0u8; 4];
    LittleEndian::write_u32(&mut b, n);
    b
}

/// Reading back the four bytes of `n` gives `n`.
pub proof fn lemma_le_u32_of_bytes(n: u32)
    ensures
        le_u32(u32_le(n)) == n,
{
    let q1 = n / 256;
    let q2 = q1 / 256;
    assert(n == 256 * q1 + n % 256);
    assert(q1 == 256 * q2 + q1 % 256);
    assert(q2 == 256 * (q2 / 256) + q2 % 256);
    assert(q2 / 256 < 256);
    assert(q2 == n / 65536) by {
        vstd::arithmetic::div_mod::lemma_div_denominator(n as int, 256, 256);
    }
    assert(q2 / 256 == n / 16777216) by {
        vstd::arithmetic::div_mod::lemma_div_denominator(n as int, 65536, 256);
    }
}

/// Appends the bytes of `src` to `out`.
pub(crate) fn push_all(out: &mut Vec<u8>, src: &[u8])
    ensures
        final(out)@ == old(out)@ + src@,
{
    let mut i: usize = 0;
    while i < src.len()
        invariant
            i <= src@.len(),
            out@ == old(out)@ + src@.subrange(0, i as int),
        decreases src@.len() - i,
    {
        out.push(src[i]);
        i = i + 1;
        assert(src@.subrange(0, i as int) == src@.subrange(0, i - 1) + seq![src@[i - 1]]);
    }
    assert(src@.subrange(0, src@.len() as int) == src@);
}

/// Encodes one record: header, then key, then value.
pub fn encode(key: &[u8], value: &[u8]) -> (r: Vec<u8>)
    requires
        key@.len() <= u32::MAX,
        value@.len() <= u32::MAX,
        key@.len() + value@.len() + 12 <= usize::MAX,
    ensures
        r@ == encode_spec(key@, value@),
        r@.len() == HEADER_LEN + key@.len() + value@.len(),
{
    let mut data: Vec<u8> = Vec::new();
    push_all(&mut data, key);
    push_all(&mut data, value);
    let sum = checksum(data.as_slice(), 0, data.len());
    assert(data@.subrange(0, data@.len() as int) == data@);
    let mut out: Vec<u8> = Vec::new();
    let c = le_bytes_u32(sum);
    push_all(&mut out, &c);
    let k = le_bytes_u32(key.len() as u32);
    push_all(&mut out, &k);
    let v = le_bytes_u32(value.len() as u32);
    push_all(&mut out, &v);
    push_all(&mut out, data.as_slice());
    assert(out@ == encode_spec(key@, value@)) by {
        reveal(encode_spec);
    }
    out
}

/// Copies `buf[from..to]` into a new vector.
pub(crate) fn copy_range(buf: &[u8], from: usize, to: usize) -> (r: Vec<u8>)
    requires
        from <= to <= buf@.len(),
    ensures
        r@ == buf@.subrange(from as int, to as int),
{
    let mut out: Vec<u8> = Vec::new();
    let mut i: usize = from;
    while i < to
        invariant
            from <= i <= to <= buf@.len(),
            out@ == buf@.subrange(from as int, i as int),
        decreases to - i,
    {
        out.push(buf[i]);
        i = i + 1;
        assert(buf@.subrange(from as int, i as int) == buf@.subrange(from as int, i - 1) + seq![
            buf@[i - 1],
        ]);
    }
    out
}

/// Decodes the record that starts at byte `position` of `log`.
///
/// Ends in `EndOfLog` when nothing is left at `position`, in `TruncatedRecord`
/// when the log ends inside the record, and in `Corruption` when the data does
/// not match the stored checksum.
pub fn decode(log: &[u8], position: usize) -> (r: Result<KeyValuePair, KvError>)
    ensures
        match r {
            Ok(kv) => decode_spec(log@, position as int) == Ok::<(Seq<u8>, Seq<u8>), KvError>(kv@),
            Err(e) => decode_spec(log@, position as int) == Err::<(Seq<u8>, Seq<u8>), KvError>(e),
        },
{
    if position >= log.len() {
        return Err(KvError::EndOfLog);
    }
    if log.len() - position < HEADER_LEN {
        return Err(KvError::TruncatedRecord);
    }
    let saved_checksum = read_le_u32(log, position);
    let key_len = read_le_u32(log, position + 4);
    let val_len = read_le_u32(log, position + 8);
    let start = position + HEADER_LEN;
    let available = log.len() - start;
    if key_len as u64 + val_len as u64 > available as u64 {
        return Err(KvError::TruncatedRecord);
    }
    let split = start + key_len as usize;
    let end = split + val_len as usize;
    let sum = checksum(log, start, end);
    if sum != saved_checksum {
        return Err(KvError::Corruption);
    }
    let key = copy_range(log, start, split);
    let value = copy_range(log, split, end);
    proof {
        let data = log@.subrange(start as int, end as int);
        assert(data.subrange(0, key_len as int) == key@);
        assert(data.subrange(key_len as int, data.len() as int) == value@);
    }
    Ok(KeyValuePair { key, value })
}

} // verus!
