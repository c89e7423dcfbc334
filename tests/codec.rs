use actionkv::codec::{encode, decode, KvError};

#[test]
fn encode_writes_header_then_data() {
    let bytes = encode(b"name", b"alice");
    assert_eq!(
        bytes,
        vec![43, 22, 29, 61, 4, 0, 0, 0, 5, 0, 0, 0, 110, 97, 109, 101, 97, 108, 105, 99, 101]
    );
}

#[test]
fn encode_checksum_is_ieee_crc32() {
    let bytes = encode(b"name", b"bob");
    assert_eq!(&bytes[0..4], &0xe29de8a6u32.to_le_bytes());
    assert_eq!(bytes.len(), 12 + 4 + 3);
}

#[test]
fn encode_empty_record() {
    assert_eq!(encode(b"", b""), vec![0u8; 12]);
}

#[test]
fn decode_round_trip() {
    let cases: Vec<(&[u8], &[u8])> = vec![
        (b"name", b"alice"),
        (b"", b""),
        (b"k", b""),
        (b"", b"v"),
        (&[0, 255, 7], &[1, 2, 3, 4, 5, 6, 7, 8, 9]),
    ];
    for (k, v) in cases {
        let bytes = encode(k, v);
        let kv = decode(&bytes, 0).unwrap();
        assert_eq!(kv.key, k.to_vec());
        assert_eq!(kv.value, v.to_vec());
    }
}

#[test]
fn decode_at_offset_in_longer_log() {
    let mut log = encode(b"a", b"1");
    let second = log.len();
    log.extend(encode(b"bb", b"22"));
    let kv = decode(&log, second).unwrap();
    assert_eq!(kv.key, b"bb".to_vec());
    assert_eq!(kv.value, b"22".to_vec());
}

#[test]
fn flipped_bit_is_corruption() {
    let bytes = encode(b"name", b"alice");
    for i in 12..bytes.len() {
        for bit in 0..8 {
            let mut altered = bytes.clone();
            altered[i] ^= 1 << bit;
            assert_eq!(decode(&altered, 0).unwrap_err(), KvError::Corruption);
        }
    }
}

#[test]
fn flipped_checksum_byte_is_corruption() {
    let mut bytes = encode(b"name", b"alice");
    bytes[0] ^= 1;
    assert_eq!(decode(&bytes, 0).unwrap_err(), KvError::Corruption);
}

#[test]
fn empty_stream_is_end_of_log() {
    assert_eq!(decode(&[], 0).unwrap_err(), KvError::EndOfLog);
    let bytes = encode(b"k", b"v");
    assert_eq!(decode(&bytes, bytes.len()).unwrap_err(), KvError::EndOfLog);
}

#[test]
fn partial_header_is_truncated() {
    let bytes = encode(b"name", b"alice");
    for cut in 1..12 {
        assert_eq!(decode(&bytes[..cut], 0).unwrap_err(), KvError::TruncatedRecord);
    }
}

#[test]
fn partial_data_is_truncated() {
    let bytes = encode(b"name", b"alice");
    for cut in 12..bytes.len() {
        assert_eq!(decode(&bytes[..cut], 0).unwrap_err(), KvError::TruncatedRecord);
    }
}
