use hg_rs::errors::StoreError;
use hg_rs::record::Record;
use hg_rs::revlog::RevLog;
use sha1::{Digest, Sha1};

#[test]
fn test_revlog() {
    let mut revlog = RevLog::new();
    assert_eq!(revlog.size().unwrap(), 0);
    revlog.add_revision(b"hello my bytes").unwrap();
    assert_eq!(revlog.size().unwrap(), 1);
    revlog.add_revision(b"hello my other bytes").unwrap();
    assert_eq!(revlog.size().unwrap(), 2);

    let expected0 = Record {
        hunk_length: b"hello my bytes".len() as u32,
        uncompressed_length: b"hello my bytes".len() as u32,
        base_revision: 0,
        parent1_revision: None,
        parent2_revision: None,
        hash: {
            let mut hasher = Sha1::new();
            hasher.update([0u8; 20]);
            hasher.update([0u8; 20]);
            hasher.update(b"hello my bytes");
            hasher.finalize().to_vec()
        },
        ..Record::default()
    };
    let expected1 = Record {
        hunk_length: b"hello my other bytes".len() as u32,
        uncompressed_length: b"hello my other bytes".len() as u32,
        hunk_offset: b"hello my bytes".len() as u64,
        base_revision: 1,
        parent1_revision: Some(0),
        parent2_revision: None,
        hash: {
            let mut hasher = Sha1::new();
            hasher.update([0u8; 20]);
            hasher.update(&expected0.hash);
            hasher.update(b"hello my other bytes");
            hasher.finalize().to_vec()
        },
        ..Record::default()
    };

    assert_eq!(revlog.get_record(0).unwrap(), expected0);
    assert_eq!(revlog.get_record(1).unwrap(), expected1);
    assert!(revlog.get_record(2).is_err());
}

#[test]
fn hunks_come_back_unchanged() {
    let mut revlog = RevLog::new();
    revlog.add_revision(b"first").unwrap();
    revlog.add_revision(b"second hunk").unwrap();
    assert_eq!(revlog.get_hunk(0).unwrap(), b"first".to_vec());
    assert_eq!(revlog.get_hunk(1).unwrap(), b"second hunk".to_vec());
    assert_eq!(revlog.get_last_hunk().unwrap(), b"second hunk".to_vec());
}

#[test]
fn hash_determinism() {
    let mut one = RevLog::new();
    let mut two = RevLog::new();
    let first = one.add_revision(b"same content").unwrap();
    let second = two.add_revision(b"same content").unwrap();
    assert_eq!(first, second);
    assert_eq!(first.hash, second.hash);
}

#[test]
fn format_error_on_ragged_index() {
    let log = RevLog::from_parts(vec![1, 2, 3], Vec::new());
    assert_eq!(log.size().unwrap_err(), StoreError::FormatError);
    assert_eq!(log.get_record(0).unwrap_err(), StoreError::FormatError);
}

#[test]
fn out_of_range_past_the_end() {
    let mut log = RevLog::new();
    log.add_revision(b"x").unwrap();
    assert_eq!(log.get_record(1).unwrap_err(), StoreError::OutOfRange);
}

#[test]
fn empty_log_has_no_last_hunk() {
    let log = RevLog::new();
    assert_eq!(log.get_last_hunk().unwrap_err(), StoreError::EmptyLog);
}

#[test]
fn io_error_on_short_data_stream() {
    let mut good = RevLog::new();
    good.add_revision(b"hello my bytes").unwrap();
    // same index, but a data stream that ends too early
    let index = good.index_bytes().clone();
    let truncated = RevLog::from_parts(index, b"hel".to_vec());
    assert_eq!(truncated.get_hunk(0).unwrap_err(), StoreError::IoError);
}

#[test]
fn streams_grow_by_append_only() {
    let mut log = RevLog::new();
    log.add_revision(b"aa").unwrap();
    let index_before = log.index_bytes().clone();
    let data_before = log.data_bytes().clone();
    log.add_revision(b"bbb").unwrap();
    assert_eq!(&log.index_bytes()[..index_before.len()], &index_before[..]);
    assert_eq!(&log.data_bytes()[..data_before.len()], &data_before[..]);
    assert_eq!(log.data_bytes().len(), data_before.len() + 3);
    assert_eq!(log.index_bytes().len(), index_before.len() + 64);
}
