use actionkv::codec::{encode, KvError};
use actionkv::store::{ActionKV, StoreState};

#[test]
fn scenario_two_inserts_then_reload() {
    let mut kv = ActionKV::open(Vec::new());
    assert_eq!(kv.insert(b"name", b"alice"), 0);
    assert_eq!(kv.insert(b"name", b"bob"), 21);
    let mut reopened = ActionKV::open(kv.log().to_vec());
    assert_eq!(reopened.load(), Ok(()));
    assert_eq!(reopened.index().len(), 1);
    assert_eq!(reopened.index().get(b"name"), Some(21));
    assert_eq!(reopened.get(b"name"), Ok(Some(b"bob".to_vec())));
}

#[test]
fn last_writer_wins_after_reload() {
    let mut kv = ActionKV::open(Vec::new());
    kv.insert(b"name", b"alice");
    kv.insert(b"other", b"x");
    kv.insert(b"name", b"bob");
    let mut reopened = ActionKV::open(kv.log().to_vec());
    reopened.load().unwrap();
    assert_eq!(reopened.get(b"name"), Ok(Some(b"bob".to_vec())));
    assert_eq!(reopened.get(b"other"), Ok(Some(b"x".to_vec())));
}

#[test]
fn insert_updates_index_without_reload() {
    let mut kv = ActionKV::open(Vec::new());
    kv.insert(b"name", b"alice");
    assert_eq!(kv.get(b"name"), Ok(Some(b"alice".to_vec())));
    kv.insert(b"name", b"bob");
    assert_eq!(kv.get(b"name"), Ok(Some(b"bob".to_vec())));
}

#[test]
fn load_twice_gives_same_index() {
    let mut kv = ActionKV::open(Vec::new());
    kv.insert(b"a", b"1");
    kv.insert(b"b", b"2");
    kv.insert(b"a", b"3");
    let mut once = ActionKV::open(kv.log().to_vec());
    once.load().unwrap();
    let mut twice = ActionKV::open(kv.log().to_vec());
    twice.load().unwrap();
    twice.load().unwrap();
    for key in [&b"a"[..], &b"b"[..], &b"c"[..]] {
        assert_eq!(once.index().get(key), twice.index().get(key));
    }
    assert_eq!(once.index().len(), twice.index().len());
    assert_eq!(twice.index().get(b"a"), Some(28));
}

#[test]
fn truncated_tail_is_dropped() {
    let mut log = encode(b"first", b"one");
    let partial = encode(b"second", b"two");
    log.extend_from_slice(&partial[..partial.len() - 1]);
    let mut kv = ActionKV::open(log.clone());
    assert_eq!(kv.load(), Ok(()));
    assert_eq!(kv.index().len(), 1);
    assert_eq!(kv.index().get(b"first"), Some(0));
    assert_eq!(kv.get(b"second"), Ok(None));

    let mut header_only = encode(b"first", b"one");
    header_only.extend_from_slice(&partial[..5]);
    let mut kv = ActionKV::open(header_only);
    assert_eq!(kv.load(), Ok(()));
    assert_eq!(kv.index().len(), 1);
}

#[test]
fn fresh_store_finds_nothing() {
    let mut kv = ActionKV::open(Vec::new());
    kv.insert(b"name", b"alice");
    let fresh = ActionKV::open(kv.log().to_vec());
    assert_eq!(fresh.get(b"name"), Ok(None));
    assert_eq!(fresh.get(b""), Ok(None));
    assert_eq!(fresh.index().len(), 0);
}

#[test]
fn offsets_equal_log_length_before_insert() {
    let mut kv = ActionKV::open(Vec::new());
    let pairs: Vec<(&[u8], &[u8])> = vec![(b"a", b""), (b"bb", b"cc"), (b"", b"xyz"), (b"a", b"q")];
    for (k, v) in pairs {
        let before = kv.log().len() as u64;
        assert_eq!(kv.insert(k, v), before);
        assert_eq!(kv.log().len() as u64, before + 12 + k.len() as u64 + v.len() as u64);
    }
}

#[test]
fn raw_append_leaves_index_alone() {
    let mut kv = ActionKV::open(Vec::new());
    assert_eq!(kv.insert_but_ignore_index(b"k", b"v"), 0);
    assert_eq!(kv.get(b"k"), Ok(None));
    assert_eq!(kv.load(), Ok(()));
    assert_eq!(kv.get(b"k"), Ok(Some(b"v".to_vec())));
}

#[test]
fn corruption_stops_load_and_keeps_earlier_entries() {
    let mut log = encode(b"good", b"1");
    let bad_at = log.len();
    log.extend(encode(b"bad", b"2"));
    log.extend(encode(b"later", b"3"));
    log[bad_at + 12] ^= 0x10;
    let mut kv = ActionKV::open(log);
    assert_eq!(kv.load(), Err(KvError::Corruption));
    assert_eq!(kv.index().get(b"good"), Some(0));
    assert_eq!(kv.index().get(b"later"), None);
    assert_eq!(kv.get(b"good"), Ok(Some(b"1".to_vec())));
}

#[test]
fn get_at_reports_truncation_and_end() {
    let mut log = encode(b"k", b"value");
    let full = log.len();
    let kv = ActionKV::open(log.clone());
    assert_eq!(kv.get_at(0).unwrap().value, b"value".to_vec());
    assert_eq!(kv.get_at(full as u64).unwrap_err(), KvError::EndOfLog);
    assert_eq!(kv.get_at(u64::MAX).unwrap_err(), KvError::EndOfLog);
    log.truncate(full - 2);
    let kv = ActionKV::open(log);
    assert_eq!(kv.get_at(0).unwrap_err(), KvError::TruncatedRecord);
}

#[test]
fn process_record_through_store() {
    let bytes = encode(b"x", b"y");
    let kv = ActionKV::process_record(&bytes, 0).unwrap();
    assert_eq!((kv.key, kv.value), (b"x".to_vec(), b"y".to_vec()));
}

#[test]
fn state_follows_open_load_and_corruption() {
    let mut kv = ActionKV::open(Vec::new());
    assert_eq!(kv.state(), StoreState::OpenEmpty);
    kv.insert(b"k", b"v");
    assert_eq!(kv.state(), StoreState::OpenEmpty);
    kv.load().unwrap();
    assert_eq!(kv.state(), StoreState::Loaded);

    let mut log = kv.log().to_vec();
    log[12] ^= 0x01;
    let mut damaged = ActionKV::open(log);
    assert_eq!(damaged.load(), Err(KvError::Corruption));
    assert_eq!(damaged.state(), StoreState::Corrupted);
    let at = damaged.insert(b"new", b"w");
    assert_eq!(damaged.state(), StoreState::Corrupted);
    assert_eq!(damaged.get(b"new"), Ok(Some(b"w".to_vec())));
    assert_eq!(at, 14);
}
